//! Buckets for the histogram metric, and their cumulative view.
use vstd::prelude::*;

use crate::atomic::AtomicU64;
use crate::error::{Error, ErrorKind};
use crate::float_bits::{is_nan, nan_bits};

verus! {

/// A bucket in which a histogram counts samples.  The bucket itself is not
/// cumulative.
#[derive(Debug, Clone, Copy)]
pub struct Bucket {
    /// The count of samples that fell in this bucket.
    pub count: AtomicU64,
    /// The inclusive upper bound, as an IEEE-754 bit pattern; never a NaN.
    pub upper_bound: u64,
}

impl Bucket {
    /// Returns the count of samples in this bucket.
    pub fn count(&self) -> (r: u64)
        ensures
            r == self.count.value,
    {
        self.count.get()
    }

    /// Returns the upper bound of this bucket, as an IEEE-754 bit pattern;
    /// never a NaN.
    pub fn upper_bound(&self) -> (r: u64)
        ensures
            r == self.upper_bound,
    {
        self.upper_bound
    }

    /// Makes an empty bucket, rejecting a NaN upper bound.
    pub fn new(upper_bound: u64) -> (r: Result<Self, Error>)
        ensures
            match r {
                Result::Ok(b) => !is_nan(upper_bound) && b.upper_bound == upper_bound
                    && b.count.value == 0,
                Result::Err(e) => is_nan(upper_bound) && e.kind == ErrorKind::InvalidInput,
            },
    {
        if nan_bits(upper_bound) {
            return Err(Error::invalid_input());
        }
        Ok(Bucket { count: AtomicU64::new(0), upper_bound })
    }

    /// Counts one more sample.
    pub fn increment(&mut self)
        requires
            old(self).count.value < u64::MAX,
        ensures
            final(self).count.value == old(self).count.value + 1,
            final(self).upper_bound == old(self).upper_bound,
    {
        let c = self.count.get();
        self.count.set(c + 1);
    }
}

/// The sum of the buckets' counts.
pub open spec fn sum_counts(s: Seq<Bucket>) -> int
    decreases s.len(),
{
    if s.len() == 0 {
        0
    } else {
        sum_counts(s.drop_last()) + s.last().count.value
    }
}

/// The cumulative count just after index `i`: every sample in a bucket at or
/// below `i`.
pub open spec fn cum_at(s: Seq<Bucket>, i: int) -> int {
    sum_counts(s.take(i + 1))
}

/// Prefix sums grow by the next count.
pub proof fn lemma_sum_counts_take(s: Seq<Bucket>, i: int)
    requires
        0 <= i < s.len(),
    ensures
        sum_counts(s.take(i + 1)) == sum_counts(s.take(i)) + s[i].count.value,
{
    assert(s.take(i + 1).drop_last() =~= s.take(i));
    assert(s.take(i + 1).last() == s[i]);
}

/// Every sum of counts is non-negative.
pub proof fn lemma_sum_counts_nonneg(s: Seq<Bucket>)
    ensures
        sum_counts(s) >= 0,
    decreases s.len(),
{
    if s.len() > 0 {
        lemma_sum_counts_nonneg(s.drop_last());
    }
}

/// A prefix sums to no more than the whole.
pub proof fn lemma_sum_counts_prefix(s: Seq<Bucket>, i: int)
    requires
        0 <= i <= s.len(),
    ensures
        sum_counts(s.take(i)) <= sum_counts(s),
    decreases s.len() - i,
{
    if i < s.len() {
        lemma_sum_counts_take(s, i);
        lemma_sum_counts_prefix(s, i + 1);
    } else {
        assert(s.take(i) =~= s);
    }
}

/// Cumulative counts never decrease with the index.
pub proof fn lemma_cum_monotone(s: Seq<Bucket>, i: int, j: int)
    requires
        0 <= i <= j < s.len(),
    ensures
        cum_at(s, i) <= cum_at(s, j),
    decreases j - i,
{
    if i < j {
        lemma_sum_counts_take(s, j);
        lemma_cum_monotone(s, i, j - 1);
    }
}

/// Replacing one bucket changes the sum by the change in its count.
pub proof fn lemma_sum_counts_update(s: Seq<Bucket>, j: int, b: Bucket)
    requires
        0 <= j < s.len(),
    ensures
        sum_counts(s.update(j, b)) == sum_counts(s) - s[j].count.value + b.count.value,
    decreases s.len(),
{
    let t = s.update(j, b);
    if j == s.len() - 1 {
        assert(t.drop_last() =~= s.drop_last());
        assert(t.last() == b);
    } else {
        assert(t.drop_last() =~= s.drop_last().update(j, b));
        assert(t.last() == s.last());
        lemma_sum_counts_update(s.drop_last(), j, b);
    }
}

/// One count is at most the sum of all of them.
pub proof fn lemma_count_le_sum(s: Seq<Bucket>, j: int)
    requires
        0 <= j < s.len(),
    ensures
        s[j].count.value <= sum_counts(s),
    decreases s.len(),
{
    if j == s.len() - 1 {
        lemma_sum_counts_nonneg(s.drop_last());
    } else {
        lemma_count_le_sum(s.drop_last(), j);
    }
}

/// A run of empty buckets counts no samples.
pub proof fn lemma_sum_counts_zero(s: Seq<Bucket>)
    requires
        forall|i: int| 0 <= i < s.len() ==> (#[trigger] s[i]).count.value == 0,
    ensures
        sum_counts(s) == 0,
    decreases s.len(),
{
    if s.len() > 0 {
        lemma_sum_counts_zero(s.drop_last());
    }
}

/// A cumulative bucket: an upper bound with the count of every sample at or
/// below it.
#[derive(Debug, Clone, Copy)]
pub struct CumulativeBucket {
    /// The cumulative count of samples.
    pub cumulative_count: u64,
    /// The upper bound, as an IEEE-754 bit pattern; never a NaN.
    pub upper_bound: u64,
}

impl CumulativeBucket {
    /// Returns the cumulative count of samples.
    pub fn cumulative_count(&self) -> (r: u64)
        ensures
            r == self.cumulative_count,
    {
        self.cumulative_count
    }

    /// Returns the upper bound of this bucket, as an IEEE-754 bit pattern.
    pub fn upper_bound(&self) -> (r: u64)
        ensures
            r == self.upper_bound,
    {
        self.upper_bound
    }
}

/// A cursor over the cumulative buckets of a histogram's bucket snapshot.
pub struct CumulativeBuckets {
    /// The snapshot of buckets.
    pub buckets: Vec<Bucket>,
    /// The position of the next bucket to hand out.
    pub pos: usize,
    /// The running cumulative count.
    pub acc: u64,
}

impl CumulativeBuckets {
    /// The cursor's accumulated count matches its position, and the whole
    /// sum stays within range.
    pub open spec fn wf(&self) -> bool {
        &&& self.pos <= self.buckets@.len()
        &&& self.acc == sum_counts(self.buckets@.take(self.pos as int))
        &&& sum_counts(self.buckets@) <= u64::MAX
    }

    /// Hands out the next cumulative bucket, if one is left.
    pub fn next(&mut self) -> (r: Option<CumulativeBucket>)
        requires
            old(self).wf(),
        ensures
            final(self).wf(),
            final(self).buckets@ == old(self).buckets@,
            match r {
                Option::Some(c) => {
                    &&& old(self).pos < old(self).buckets@.len()
                    &&& final(self).pos == old(self).pos + 1
                    &&& c.upper_bound == old(self).buckets@[old(self).pos as int].upper_bound
                    &&& c.cumulative_count == cum_at(old(self).buckets@, old(self).pos as int)
                },
                Option::None => {
                    &&& old(self).pos >= old(self).buckets@.len()
                    &&& *final(self) == *old(self)
                },
            },
    {
        if self.pos >= self.buckets.len() {
            return None;
        }
        let b = self.buckets[self.pos];
        proof {
            lemma_sum_counts_take(self.buckets@, self.pos as int);
            lemma_sum_counts_prefix(self.buckets@, self.pos as int + 1);
            lemma_sum_counts_nonneg(self.buckets@.take(self.pos as int));
        }
        self.acc = self.acc + b.count();
        self.pos = self.pos + 1;
        Some(CumulativeBucket { cumulative_count: self.acc, upper_bound: b.upper_bound })
    }
}

} // verus!
